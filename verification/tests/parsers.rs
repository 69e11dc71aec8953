use terminal::config::{colorref_to_hex, default_window_rect, fallback_window_rect, parse_color, parse_hex_to_colorref, Bookmark, HotkeyConfig, WindowPosition};
use terminal::crash::exception_name;
use terminal::image::iterm2;
use terminal::image::osc52::{self, Osc52Action};
use terminal::image::sixel;
use terminal::pty::ssh_config;
use terminal::pty::{default_auth, default_port};
use terminal::tailscale;
use terminal::url::first_span_exec;

fn hotkey(modifiers: &str, key: &str) -> HotkeyConfig {
    HotkeyConfig { enabled: true, modifiers: modifiers.to_string(), key: key.to_string() }
}

#[test]
fn default_hotkey_is_alt_shift_v() {
    let h = HotkeyConfig::default();
    assert!(h.enabled);
    assert_eq!(h.modifier_flags(), 0x0001 | 0x0004);
    assert_eq!(h.virtual_key(), 0x56);
}

#[test]
fn hotkey_modifier_flags() {
    assert_eq!(hotkey("ctrl", "a").modifier_flags(), 2);
    assert_eq!(hotkey(" Ctrl , WIN ", "a").modifier_flags(), 2 | 8);
    assert_eq!(hotkey("alt,alt,shift", "a").modifier_flags(), 5);
    assert_eq!(hotkey("hyper", "a").modifier_flags(), 0);
    assert_eq!(hotkey("", "a").modifier_flags(), 0);
}

#[test]
fn hotkey_virtual_keys() {
    assert_eq!(hotkey("", "grave").virtual_key(), 0xC0);
    assert_eq!(hotkey("", "`").virtual_key(), 0xC0);
    assert_eq!(hotkey("", "OEM3").virtual_key(), 0xC0);
    assert_eq!(hotkey("", "Space").virtual_key(), 0x20);
    assert_eq!(hotkey("", "tab").virtual_key(), 0x09);
    assert_eq!(hotkey("", "F1").virtual_key(), 0x70);
    assert_eq!(hotkey("", "f9").virtual_key(), 0x78);
    assert_eq!(hotkey("", "f10").virtual_key(), 0x79);
    assert_eq!(hotkey("", "F12").virtual_key(), 0x7B);
    assert_eq!(hotkey("", "f13").virtual_key(), 0);
    assert_eq!(hotkey("", "q").virtual_key(), 'Q' as u32);
    assert_eq!(hotkey("", "7").virtual_key(), '7' as u32);
    assert_eq!(hotkey("", "-").virtual_key(), 0);
    assert_eq!(hotkey("", "é").virtual_key(), 0);
    assert_eq!(hotkey("", "enter").virtual_key(), 0);
}

#[test]
fn colors_parse() {
    assert_eq!(parse_color("#CCCCCC"), (0xCC, 0xCC, 0xCC));
    assert_eq!(parse_color("0c0c0c"), (12, 12, 12));
    assert_eq!(parse_color("##102030"), (0x10, 0x20, 0x30));
    assert_eq!(parse_color("#zz2030"), (204, 0x20, 0x30));
    assert_eq!(parse_color("#+f2030"), (15, 0x20, 0x30));
    assert_eq!(parse_color("#123"), (204, 204, 204));
    assert_eq!(parse_color("#1234567"), (0x12, 0x34, 0x56));
}

#[test]
fn plain_config_types() {
    let b = Bookmark { name: "WSL".to_string(), shell: Some("wsl.exe".to_string()), ssh: None };
    assert_eq!(b.clone().name, "WSL");
    let w = WindowPosition { x: 1, y: 2, width: 3, height: 4 };
    assert_eq!(w, WindowPosition { x: 1, y: 2, width: 3, height: 4 });
}

#[test]
fn ssh_config_profiles() {
    let text = "\
# comment\n\
Host *\n\
  User defaultuser\n\
  IdentityFile ~/.ssh/id_ed25519\n\
Host web prod-*\n\
  HostName example.com\n\
  Port 2222\n\
Host db\n\
  HostName=10.0.0.5\n\
  User admin # trailing comment\n\
  Port notanumber\n\
Host *.internal\n\
  User x\n";
    let ps = ssh_config::parse(text, "me");
    assert_eq!(ps.len(), 2);
    assert_eq!(ps[0].name, "web");
    assert_eq!(ps[0].host, "example.com");
    assert_eq!(ps[0].port, 2222);
    assert_eq!(ps[0].user, "defaultuser");
    assert_eq!(ps[0].key_path.as_deref(), Some("~/.ssh/id_ed25519"));
    assert_eq!(ps[0].auth, "key");
    assert_eq!(ps[0].password, None);
    assert_eq!(ps[1].name, "db");
    assert_eq!(ps[1].host, "10.0.0.5");
    assert_eq!(ps[1].port, 22);
    assert_eq!(ps[1].user, "admin");
}

#[test]
fn ssh_config_defaults_apply_only_after_they_are_read() {
    let text = "Host early\nHost *\nUser late\nHost later\n";
    let ps = ssh_config::parse(text, "fallback");
    assert_eq!(ps.len(), 2);
    assert_eq!(ps[0].name, "early");
    assert_eq!(ps[0].user, "fallback");
    assert_eq!(ps[0].host, "early");
    assert_eq!(ps[1].name, "later");
    assert_eq!(ps[1].user, "late");
}

#[test]
fn ssh_config_ports_and_wildcards() {
    let ps = ssh_config::parse("Host a\nPort +80\nHost b\nPort 70000\nHost c?\n", "u");
    assert_eq!(ps.len(), 2);
    assert_eq!(ps[0].port, 80);
    assert_eq!(ps[1].port, 22);
    assert!(ssh_config::parse("", "u").is_empty());
    assert!(ssh_config::parse("Host * ?\nUser z\n", "u").is_empty());
}

#[test]
fn profile_defaults() {
    assert_eq!(default_port(), 22);
    assert_eq!(default_auth(), "key");
}

#[test]
fn tailscale_status_parsing() {
    let out = "\
100.64.0.1   mybox        me@   windows -\n\
100.64.0.2   server       me@   linux   active; direct 1.2.3.4:41641\n\
100.64.0.3   laptop       me@   macOS   offline\n\
\n\
# Health check:\n\
100.64.0.4   phone        me@   android idle, tx 1 rx 2\n";
    let peers = tailscale::parse(out);
    assert_eq!(peers.len(), 3);
    assert_eq!(peers[0].host, "server");
    assert_eq!(peers[0].ip, "100.64.0.2");
    assert_eq!(peers[0].os, "linux");
    assert!(peers[0].online);
    assert_eq!(peers[1].host, "laptop");
    assert!(!peers[1].online);
    assert_eq!(peers[2].host, "phone");
    assert!(peers[2].online);
}

#[test]
fn tailscale_dash_status_means_offline_and_short_lines_skip() {
    let out = "1.1.1.1 self u linux\nshort line\n2.2.2.2 peer u linux -\n3.3.3.3 other u windows\n";
    let peers = tailscale::parse(out);
    assert_eq!(peers.len(), 2);
    assert!(!peers[0].online);
    assert_eq!(peers[1].host, "other");
    assert!(peers[1].online);
}

#[test]
fn osc52_parse_cases() {
    match osc52::parse("52;c;aGVsbG8=") {
        Some(Osc52Action::SetClipboard(t)) => assert_eq!(t, "hello"),
        _ => panic!("expected a clipboard set"),
    }
    match osc52::parse("52;p; aGk= ") {
        Some(Osc52Action::SetClipboard(t)) => assert_eq!(t, "hi"),
        _ => panic!("expected a clipboard set"),
    }
    assert!(matches!(osc52::parse("52;c;?"), Some(Osc52Action::QueryClipboard)));
    assert!(osc52::parse("53;c;aGk=").is_none());
    assert!(osc52::parse("52;c").is_none());
    assert!(osc52::parse("52;c;@@@").is_none());
    assert!(osc52::parse("52;c;/w==").is_none());
}

#[test]
fn osc52_encode_round_trip() {
    let bytes = osc52::encode_clipboard("héllo");
    assert!(bytes.starts_with(b"\x1b]52;c;"));
    assert_eq!(*bytes.last().unwrap(), 0x07);
    let payload = std::str::from_utf8(&bytes[2..bytes.len() - 1]).unwrap();
    match osc52::parse(payload) {
        Some(Osc52Action::SetClipboard(t)) => assert_eq!(t, "héllo"),
        _ => panic!("round trip failed"),
    }
    assert_eq!(osc52::encode_clipboard("hi"), b"\x1b]52;c;aGk=\x07".to_vec());
    assert_eq!(osc52::encode_clipboard(""), b"\x1b]52;c;\x07".to_vec());
}

#[test]
fn iterm2_needs_inline_file() {
    assert!(iterm2::decode("File=inline=0:aGk=").is_none());
    assert!(iterm2::decode("File=name=x:aGk=").is_none());
    assert!(iterm2::decode("Image=inline=1:aGk=").is_none());
    assert!(iterm2::decode("File=inline=1").is_none());
    assert!(iterm2::decode("File=inline=1:@@@").is_none());
    assert!(iterm2::decode("File=inline=1;size=2:aGk=").is_none());
}

#[test]
fn iterm2_decodes_inline_png() {
    // A 1x1 opaque red PNG.
    let png_b64 = "iVBORw0KGgoAAAANSUhEUgAAAAEAAAABCAYAAAAfFcSJAAAADUlEQVR4nGP4z8DwHwAFAAH/iZk9HQAAAABJRU5ErkJggg==";
    let payload = format!("File=name=eA==;inline=1:{}", png_b64);
    let (w, h, rgba) = iterm2::decode(&payload).expect("image");
    assert_eq!((w, h), (1, 1));
    assert_eq!(rgba, vec![255, 0, 0, 255]);
    let inline_last = format!("File=inline=1;inline=0:{}", png_b64);
    assert!(iterm2::decode(&inline_last).is_none());
}

#[test]
fn sixel_single_column() {
    // Colour 1 defined as pure red, then one sixel with the top two bits set.
    let (w, h, rgba) = sixel::decode(b"#1;2;100;0;0#1B").expect("image");
    assert_eq!((w, h), (1, 2));
    assert_eq!(rgba, vec![255, 0, 0, 255, 255, 0, 0, 255]);
}

#[test]
fn sixel_repeat_and_newline() {
    let (w, h, rgba) = sixel::decode(b"#0!3@-@").expect("image");
    assert_eq!((w, h), (3, 7));
    assert_eq!(rgba.len(), 3 * 7 * 4);
    // Row 0: three black opaque pixels.
    assert_eq!(&rgba[0..12], &[0, 0, 0, 255, 0, 0, 0, 255, 0, 0, 0, 255]);
    // Row 6 (second sixel row): first pixel drawn, the others transparent.
    let row6 = &rgba[6 * 12..7 * 12];
    assert_eq!(&row6[0..4], &[0, 0, 0, 255]);
    assert_eq!(&row6[4..12], &[0u8; 8][..]);
}

#[test]
fn sixel_default_palette_and_carriage_return() {
    let (w, h, rgba) = sixel::decode(b"#2@$#4@").expect("image");
    assert_eq!((w, h), (1, 1));
    // Colour 4 of the default palette: (80, 20, 80) percent.
    assert_eq!(rgba, vec![204, 51, 204, 255]);
}

#[test]
fn sixel_nothing_drawn() {
    assert!(sixel::decode(b"").is_none());
    assert!(sixel::decode(b"#1;2;0;0;0").is_none());
    assert!(sixel::decode(b"-$").is_none());
}

#[test]
fn exception_names() {
    assert_eq!(exception_name(0xC0000005), "Access violation");
    assert_eq!(exception_name(0xC00000FD), "Stack overflow");
    assert_eq!(exception_name(0x80000003), "Breakpoint");
    assert_eq!(exception_name(0x12345678), "Unknown");
}

#[test]
fn colorref_hex_conversions() {
    assert_eq!(colorref_to_hex(0x000C0C0C), "#0C0C0C");
    assert_eq!(colorref_to_hex(0x00332211), "#112233");
    assert_eq!(colorref_to_hex(0xFFABCDEF), "#EFCDAB");
    assert_eq!(parse_hex_to_colorref("#112233"), 0x00332211);
    assert_eq!(parse_hex_to_colorref("#1"), 0x00CCCCCC);
    for c in [0u32, 0x00FFFFFF, 0x12345678, 0x00A0B0C0] {
        assert_eq!(parse_hex_to_colorref(&colorref_to_hex(c)), c & 0x00FFFFFF);
    }
}

#[test]
fn iterm2_inline_image_bytes() {
    assert_eq!(iterm2::inline_image_bytes("File=size=2;inline=1: aGk= "), Some(b"hi".to_vec()));
    assert_eq!(iterm2::inline_image_bytes("File=inline=1;inline=0:aGk="), None);
    assert_eq!(iterm2::inline_image_bytes("File=inline=1:a"), None);
    assert_eq!(iterm2::inline_image_bytes("File=inline=1:"), Some(vec![]));
}

#[test]
fn first_span_maps_bytes_to_characters() {
    let ascii: Vec<char> = "go http://x.y now".chars().collect();
    assert_eq!(first_span_exec(&ascii, &vec![(3, 13)], 5), Some((3, 13)));
    assert_eq!(first_span_exec(&ascii, &vec![(3, 13)], 1), None);
    let wide: Vec<char> = "\u{e9} http://a".chars().collect();
    assert_eq!(first_span_exec(&wide, &vec![(3, 11)], 2), Some((2, 10)));
    assert_eq!(first_span_exec(&wide, &vec![(0, 2), (3, 11)], 4), Some((2, 10)));
}

#[test]
fn sixel_pixels_are_opaque_or_clear() {
    let (w, h, rgba) = sixel::decode(b"#3;2;10;20;30#3~!2A-$#5?_").expect("image");
    assert!(w >= 1 && h >= 1);
    assert_eq!(rgba.len(), 4 * w as usize * h as usize);
    for px in rgba.chunks(4) {
        assert!(px[3] == 255 || px == [0, 0, 0, 0]);
    }
}

#[test]
fn ssh_config_keeps_host_order_and_skips_patterns() {
    let ps = ssh_config::parse("Host zeta\nHost *.lan\nHost alpha beta\nHost m?\nHost mid\n", "u");
    let names: Vec<&str> = ps.iter().map(|p| p.name.as_str()).collect();
    assert_eq!(names, vec!["zeta", "alpha", "mid"]);
    for p in &ps {
        assert!(!p.name.contains('*') && !p.name.contains('?'));
        assert_eq!(p.auth, "key");
        assert_eq!(p.password, None);
        assert_eq!(p.port, 22);
        assert_eq!(p.user, "u");
        assert_eq!(p.host, p.name);
    }
}

#[test]
fn window_placement_is_centred() {
    let r = default_window_rect(0, 0, 1920, 1040);
    assert_eq!((r.x, r.y, r.width, r.height), (510, 220, 900, 600));
    let r = default_window_rect(100, 50, 900, 549);
    assert_eq!((r.x, r.y), (50, 0));
    let saved = WindowPosition { x: 5000, y: 10, width: 1200, height: 400 };
    let r = fallback_window_rect(&saved, 0, 0, 1000, 800);
    assert_eq!((r.x, r.y, r.width, r.height), (0, 200, 1000, 400));
}

use terminal::config::Bookmark;
use terminal::log::{LogFilter, LogState};
use terminal::menu::{build_menu_items, find_profile, menu_favorites, menu_layout, merge_profiles, peer_profile, MenuAction, MenuLine, MenuSection};
use terminal::perf::{phase_times, FrameStats, FrameTimer};
use terminal::pty::session::{auth_plan, connect_banner, session_step, AuthPlan, SessionEvent, SessionStep};
use terminal::pty::SshProfile;
use terminal::tabs::{tab_title, toggle_favorite, window_title, Tabs};
use terminal::tailscale::TailscalePeer;
use terminal::terminal::grid::Grid;
use terminal::url::{find_url_at, find_url_range_at};

fn profile(name: &str, host: &str, user: &str) -> SshProfile {
    SshProfile {
        name: name.to_string(),
        host: host.to_string(),
        port: 22,
        user: user.to_string(),
        auth: "key".to_string(),
        password: None,
        key_path: None,
    }
}

fn grid_with(text: &str, cols: usize) -> Grid {
    let mut t = terminal::terminal::Terminal::new(cols, 2);
    t.process(text.as_bytes());
    t.grid
}

#[test]
fn tabs_switching_and_closing() {
    let mut t: Tabs<&str> = Tabs::new();
    assert_eq!(t.len(), 0);
    t.push("a");
    t.push("b");
    t.push("c");
    assert_eq!(t.active(), 2);
    t.next();
    assert_eq!(t.active(), 0);
    t.prev();
    assert_eq!(t.active(), 2);
    t.switch(1);
    assert_eq!(*t.get(t.active()), "b");
    t.switch(7);
    assert_eq!(t.active(), 1);
    assert!(!t.close(2));
    assert_eq!(t.len(), 2);
    assert_eq!(t.active(), 1);
    assert!(!t.close(1));
    assert_eq!(t.active(), 0);
    assert!(!t.close(5));
    assert!(t.close(0));
    assert_eq!(t.len(), 0);
}

#[test]
fn tabs_cycle_back_after_len_steps() {
    let mut t: Tabs<u32> = Tabs::new();
    for i in 0..5 {
        t.push(i);
    }
    t.switch(3);
    for _ in 0..5 {
        t.next();
    }
    assert_eq!(t.active(), 3);
}

#[test]
fn tabs_moving() {
    let mut t: Tabs<char> = Tabs::new();
    t.push('a');
    t.push('b');
    t.push('c');
    t.switch(1);
    t.move_left();
    assert_eq!((*t.get(0), *t.get(1), t.active()), ('b', 'a', 0));
    t.move_left();
    assert_eq!((*t.get(0), t.active()), ('b', 0));
    t.move_right();
    assert_eq!((*t.get(0), *t.get(1), t.active()), ('a', 'b', 1));
    *t.get_mut(2) = 'z';
    assert_eq!(*t.get(2), 'z');
}

#[test]
fn titles() {
    assert_eq!(tab_title("", 0), "Tab 1");
    assert_eq!(tab_title("", 11), "Tab 12");
    assert_eq!(tab_title("vim", 3), "vim");
    assert_eq!(window_title(""), "Terminal");
    assert_eq!(window_title("vim"), "vim - Terminal");
}

#[test]
fn favorites_toggle() {
    let mut f = vec!["a".to_string(), "b".to_string()];
    toggle_favorite(&mut f, "c");
    assert_eq!(f, vec!["a", "b", "c"]);
    toggle_favorite(&mut f, "a");
    assert_eq!(f, vec!["b", "c"]);
    toggle_favorite(&mut f, "x");
    toggle_favorite(&mut f, "x");
    assert_eq!(f, vec!["b", "c"]);
}

#[test]
fn menu_items_in_sections() {
    let shells = vec![("PowerShell".to_string(), "powershell.exe".to_string())];
    let bookmarks = vec![
        Bookmark { name: "WSL".to_string(), shell: Some("wsl.exe".to_string()), ssh: None },
        Bookmark { name: "Prod".to_string(), shell: None, ssh: Some("prod".to_string()) },
        Bookmark { name: "Empty".to_string(), shell: None, ssh: None },
    ];
    let profiles = vec![profile("prod", "example.com", "root")];
    let peers = vec![
        TailscalePeer { host: "box".to_string(), ip: "100.1.1.1".to_string(), os: "linux".to_string(), online: true },
        TailscalePeer { host: "old".to_string(), ip: "100.1.1.2".to_string(), os: "linux".to_string(), online: false },
    ];
    let items = build_menu_items(&shells, &bookmarks, &profiles, &peers);
    assert_eq!(items.len(), 8);
    assert_eq!(items[0].label, "New Tab");
    assert!(items[0].fav_key.is_none());
    assert!(matches!(items[0].action, MenuAction::NewLocalTab));
    assert_eq!(items[1].label, "PowerShell");
    assert_eq!(items[1].fav_key.as_deref(), Some("shell:powershell.exe"));
    assert!(matches!(&items[2].action, MenuAction::Shell(c) if c == "wsl.exe"));
    assert_eq!(items[2].fav_key.as_deref(), Some("bookmark:WSL"));
    assert!(matches!(&items[3].action, MenuAction::SshProfileName(n) if n == "prod"));
    assert!(matches!(items[4].action, MenuAction::NoAction));
    assert_eq!(items[5].label, "prod  [root@example.com]");
    assert_eq!(items[5].fav_key.as_deref(), Some("ssh:prod"));
    assert_eq!(items[6].label, "box  100.1.1.1");
    assert_eq!(items[6].fav_key.as_deref(), Some("tailscale:box"));
    assert_eq!(items[7].label, "old  100.1.1.2 (offline)");
    let items2 = build_menu_items(&[], &[], &[], &peers[1..]);
    assert_eq!(items2[1].label, "old  100.1.1.2 (offline)");
    assert!(matches!(&items2[1].action, MenuAction::Tailscale { host } if host == "old"));
    let favs = vec!["ssh:prod".to_string(), "shell:powershell.exe".to_string(), "nothing".to_string()];
    assert_eq!(menu_favorites(&items, &favs), vec![1, 5]);
}

#[test]
fn profiles_merge_and_lookup() {
    let loaded = vec![profile("a", "a.com", "u"), profile("b", "b.com", "u")];
    let configured = vec![profile("b", "other", "v"), profile("c", "c.com", "v"), profile("c", "c2.com", "w")];
    let merged = merge_profiles(loaded, &configured);
    let names: Vec<&str> = merged.iter().map(|p| p.name.as_str()).collect();
    assert_eq!(names, vec!["a", "b", "c", "c"]);
    assert_eq!(merged[1].host, "b.com");
    assert_eq!(find_profile(&merged, &"c".to_string()).unwrap().host, "c.com");
    assert!(find_profile(&merged, &"zz".to_string()).is_none());
    let p = peer_profile(&merged, &"b.com".to_string(), &"me".to_string(), None);
    assert_eq!(p.name, "b");
    let q = peer_profile(&merged, &"new".to_string(), &"me".to_string(), Some("k".to_string()));
    assert_eq!((q.name.as_str(), q.host.as_str(), q.port, q.user.as_str(), q.auth.as_str()), ("new", "new", 22, "me", "key"));
    assert_eq!(q.key_path.as_deref(), Some("k"));
}

#[test]
fn ssh_session_decisions() {
    let mut p = profile("a", "host.example", "bob");
    p.port = 2200;
    assert_eq!(connect_banner(&p), b"\r\nConnecting to bob@host.example:2200...\r\n".to_vec());
    assert_eq!(auth_plan(&p).err(), Some("key_path required".to_string()));
    p.key_path = Some("~/.ssh/id".to_string());
    assert!(matches!(auth_plan(&p), Ok(AuthPlan::Key { user, key_path }) if user == "bob" && key_path == "~/.ssh/id"));
    p.auth = "password".to_string();
    assert!(matches!(auth_plan(&p), Ok(AuthPlan::Password { password, .. }) if password.is_empty()));
    assert!(matches!(session_step(SessionEvent::ChannelData(vec![1, 2])), SessionStep::Forward(v) if v == vec![1, 2]));
    assert!(matches!(session_step(SessionEvent::Write(vec![3])), SessionStep::SendData(v) if v == vec![3]));
    assert!(matches!(session_step(SessionEvent::Resize(80, 24)), SessionStep::WindowChange(80, 24)));
    assert!(matches!(session_step(SessionEvent::ChannelEof), SessionStep::Stop));
    assert!(matches!(session_step(SessionEvent::CommandsGone), SessionStep::Stop));
    assert!(matches!(session_step(SessionEvent::ChannelOther), SessionStep::Continue));
}

#[test]
fn log_filter_strips_escapes() {
    let mut f = LogFilter::new(true);
    assert_eq!(f.filter(b"a\x1b[31mb\r\n\x07c"), b"ab\nc".to_vec());
    assert_eq!(f.filter(b"x\x1b[1"), b"x".to_vec());
    assert_eq!(f.state, LogState::Csi);
    assert_eq!(f.filter(b"0~y"), b"y".to_vec());
    assert_eq!(f.state, LogState::Text);
    assert_eq!(f.filter("\u{e9}".as_bytes()), "\u{e9}".as_bytes().to_vec());
    let mut raw = LogFilter::new(false);
    assert_eq!(raw.filter(b"a\x1b[31m"), b"a\x1b[31m".to_vec());
}

#[test]
fn log_filter_drops_titles_and_strings() {
    let mut f = LogFilter::new(true);
    assert_eq!(f.filter(b"\x1b[31mred\x1b[0m\r\n\x1b]0;title\x07ok"), b"red\nok".to_vec());
    assert_eq!(f.filter(b"a\x1b]2;name\x1b\\b"), b"ab".to_vec());
    assert_eq!(f.filter(b"\x1bPq#0;2;0;0;0~-\x1b\\c"), b"c".to_vec());
    assert_eq!(f.filter(b"\x1b(Bd\x1b=e\x1b[?25lf"), b"def".to_vec());
    assert_eq!(f.filter(b"\x1b]0;split"), b"".to_vec());
    assert_eq!(f.state, LogState::Str);
    assert_eq!(f.filter(b" more\x07g\th\x08"), b"gh".to_vec());
}

#[test]
fn log_filter_chunks_match_whole() {
    let data: &[u8] = b"ab\x1b[2Jcd\x1b]0;t\x07e\r\n";
    let mut whole = LogFilter::new(true);
    let expected = whole.filter(data);
    for split in 0..data.len() {
        let mut f = LogFilter::new(true);
        let mut out = f.filter(&data[..split]);
        out.extend(f.filter(&data[split..]));
        assert_eq!(out, expected);
    }
}

#[test]
fn frame_stats() {
    let mut s = FrameStats::new();
    assert_eq!(s.record(5, 10), None);
    assert_eq!(s.record(20, 10), Some((1, 2, false)));
    assert_eq!((s.total, s.slow, s.max_nanos), (2, 1, 20));
    for _ in 0..48 {
        s.record(11, 10);
    }
    assert_eq!(s.record(12, 10), Some((50, 51, true)));
    assert_eq!(s.last_summary_slow, 50);
}

#[test]
fn frame_timer_reports_phases() {
    let mut stats = FrameStats::new();
    let mut t = FrameTimer::new();
    t.mark("a");
    t.mark("b");
    let r = t.finish("paint", &mut stats, 0).expect("every frame is slow at threshold 0");
    assert_eq!(r.kind, "paint");
    assert_eq!(r.phases.iter().map(|p| p.0).collect::<Vec<_>>(), vec!["a", "b"]);
    assert!(r.tail_nanos.is_some());
    assert_eq!(r.summary, None);
    let fast = FrameTimer::new().finish("paint", &mut stats, u128::MAX);
    assert!(fast.is_none());
    assert_eq!(stats.total, 2);
}

#[test]
fn urls_under_the_mouse() {
    let g = grid_with("see https://example.com/x?y=1 now", 40);
    assert_eq!(find_url_at(&g, 0, 10).as_deref(), Some("https://example.com/x?y=1"));
    assert_eq!(find_url_at(&g, 0, 4).as_deref(), Some("https://example.com/x?y=1"));
    assert_eq!(find_url_at(&g, 0, 3), None);
    assert_eq!(find_url_at(&g, 0, 30), None);
    assert_eq!(find_url_at(&g, 5, 0), None);
    assert_eq!(find_url_range_at(&g, 0, 12), Some((4, 29, "https://example.com/x?y=1".to_string())));
}

#[test]
fn urls_stop_at_brackets_and_quotes() {
    let g = grid_with("(http://a.b/c) 'https://d.e'", 40);
    assert_eq!(find_url_at(&g, 0, 2).as_deref(), Some("http://a.b/c"));
    assert_eq!(find_url_range_at(&g, 0, 20), Some((16, 27, "https://d.e".to_string())));
}

#[test]
fn urls_after_wide_characters() {
    let g = grid_with("日本 http://x.y", 20);
    // The wide characters take columns 0-3; the URL starts at column 5.
    assert_eq!(find_url_range_at(&g, 0, 6), Some((5, 15, "http://x.y".to_string())));
    assert_eq!(find_url_at(&g, 0, 1), None);
}

#[test]
fn phase_times_are_differences_of_marks() {
    let (times, tail) = phase_times(&[3, 5, 4, 10], 12);
    assert_eq!(times, vec![3, 2, 0, 6]);
    assert_eq!(tail, Some(2));
    let (times, tail) = phase_times(&[2, 7], 9);
    assert_eq!(times.iter().sum::<u128>() + tail.unwrap(), 9);
    assert_eq!(phase_times(&[], 9), (vec![], None));
}

#[test]
fn menu_layout_groups_sections_under_headers() {
    let e = |index: usize, indented: bool| MenuLine::Entry { index, indented };
    let lines = menu_layout(6, &[4, 1], 2, 1, 1);
    assert_eq!(
        lines,
        vec![
            MenuLine::Header(MenuSection::Favorites),
            e(4, true),
            e(1, true),
            MenuLine::Separator,
            e(0, false),
            MenuLine::Separator,
            MenuLine::Header(MenuSection::Shells),
            e(1, true),
            e(2, true),
            MenuLine::Separator,
            MenuLine::Header(MenuSection::Bookmarks),
            e(3, true),
            MenuLine::Separator,
            MenuLine::Header(MenuSection::Ssh),
            e(4, true),
            MenuLine::Separator,
            MenuLine::Header(MenuSection::Tailscale),
            e(5, true),
        ]
    );
    assert_eq!(menu_layout(1, &[], 0, 0, 0), vec![e(0, false)]);
    assert_eq!(
        menu_layout(3, &[], 0, 2, 0),
        vec![e(0, false), MenuLine::Separator, MenuLine::Header(MenuSection::Bookmarks), e(1, true), e(2, true)]
    );
}

use conic_terracotta::mc::scanner::{announcement, MinecraftScanner};

fn announce(motd: &str, port: &str) -> Vec<u8> {
    format!("[MOTD]{}[/MOTD][AD]{}[/AD]", motd, port).into_bytes()
}

#[test]
fn scanner_keeps_announced_ports() {
    let mut s = MinecraftScanner::new();
    let f = |motd: &str| motd != "mine";
    assert_eq!(s.offer(&f, &announce("a world", "25565"), 0), Some(true));
    assert_eq!(s.offer(&f, &announce("b world", "+40000"), 10), Some(true));
    assert_eq!(s.offer(&f, &announce("a world", "25565"), 20), Some(false));
    s.publish();
    assert_eq!(s.get_ports(), vec![40000, 25565]);
}

#[test]
fn scanner_passes_over_other_packets() {
    let mut s = MinecraftScanner::new();
    let f = |motd: &str| motd != "mine";
    assert_eq!(s.offer(&f, &announce("mine", "1"), 0), None);
    assert_eq!(s.offer(&f, &announce("", "1"), 0), None);
    assert_eq!(s.offer(&f, &announce("x", "70000"), 0), None);
    assert_eq!(s.offer(&f, b"[/MOTD]x[MOTD][AD]1[/AD]", 0), None);
    assert_eq!(s.offer(&f, b"garbage", 0), None);
    let mut only = MinecraftScanner::new();
    let g = |motd: &str| motd == "mine";
    assert_eq!(only.offer(&g, &announce("other", "1"), 0), None);
    assert_eq!(only.offer(&g, &announce("mine", "1"), 0), Some(true));
}

#[test]
fn scanner_forgets_silent_ports() {
    let mut s = MinecraftScanner::new();
    let f = |motd: &str| motd != "mine";
    s.offer(&f, &announce("a", "1"), 0);
    s.offer(&f, &announce("b", "2"), 3000);
    assert!(!s.expire(4999));
    assert!(s.expire(5000));
    s.publish();
    assert_eq!(s.get_ports(), vec![2]);
    assert!(!s.expire(1000));
}

#[test]
fn announcements_are_heard() {
    let text = announcement("a world", 25565);
    assert_eq!(text, "[MOTD]a world[/MOTD][AD]25565[/AD]");
    let mut s = MinecraftScanner::new();
    let f = |motd: &str| motd == "a world";
    assert_eq!(s.offer(&f, text.as_bytes(), 0), Some(true));
}

#[test]
fn scan_run_lists_each_announced_port_once() {
    let mut s = MinecraftScanner::new();
    let f = |motd: &str| motd != "mine";
    assert_eq!(s.offer(&f, &announce("a", "1"), 0), Some(true));
    assert_eq!(s.offer(&f, &announce("mine", "3"), 100), None);
    assert_eq!(s.offer(&f, &announce("b", "2"), 1000), Some(true));
    assert_eq!(s.offer(&f, &announce("a", "1"), 4000), Some(false));
    assert!(!s.expire(5999));
    s.publish();
    assert_eq!(s.get_ports(), vec![2, 1]);
    assert!(s.expire(6000));
    s.publish();
    assert_eq!(s.get_ports(), vec![1]);
    assert!(s.expire(9000));
    s.publish();
    assert_eq!(s.get_ports(), Vec::<u16>::new());
}

#[test]
fn filter_is_asked_about_the_message_of_the_day() {
    let asked = std::cell::RefCell::new(Vec::<String>::new());
    let f = |motd: &str| {
        asked.borrow_mut().push(motd.to_string());
        motd.starts_with("ok")
    };
    let mut s = MinecraftScanner::new();
    assert_eq!(s.offer(&f, &announce("ok world", "7"), 0), Some(true));
    assert_eq!(s.offer(&f, &announce("no world", "8"), 0), None);
    assert_eq!(s.offer(&f, b"no message here", 0), None);
    assert_eq!(*asked.borrow(), vec!["ok world".to_string(), "no world".to_string()]);
}

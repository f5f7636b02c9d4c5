use p2p_chat::command::{is_connect_request, parse_chat_command, parse_contact_command, parse_peer_command, split_words, Command};
use p2p_chat::contact::{
    contact_list_get_stream_by_socket_address, contact_list_push, contact_list_remove, PeerAddress,
};
use p2p_chat::echo::server_reply;
use p2p_chat::notice::{chat_notice_level, chat_notice_text, level_color, notice_and_prompt_text, ChatNotice, Level};
use p2p_chat::number::{decimal_text, parse_usize};
use p2p_chat::protocol::{
    close_announcement, file_header, file_header_for, is_unreadable, lookup_request, peer_step_exec, registration_message,
    text_message, try_file_header_for, Failure, PeerAction, PeerEvent, PeerState,
};
use p2p_chat::reader::{is_unreadable_outcome, reader_step, received_text, received_text_lossy, text_lossy, ReadOutcome, ReaderAction};
use p2p_chat::save::{next_save_path, plain_save_path, save_path_parts, split_numbered_stem, try_save_path_parts};
use p2p_chat::shared::ad;
use p2p_chat::text::{is_utf8, is_whitespace, remove_white, split_once_white, trim};

fn v4(a: u8, b: u8, c: u8, d: u8, port: u16) -> PeerAddress {
    PeerAddress {
        v6: false,
        ip: u32::from_be_bytes([a, b, c, d]) as u128,
        port,
        flowinfo: 0,
        scope_id: 0,
    }
}

#[test]
fn notice_with_prompt_is_coloured_by_level() {
    let t = notice_and_prompt_text(Some("[system]hi"), Some(">"), Level::System);
    assert_eq!(t, "\x1B[1G\x1B[2K\x1B[2m[system]hi\x1B[0m\n> ");
    let t = notice_and_prompt_text(Some("[bob]: yo"), None, Level::User);
    assert_eq!(t, "\x1B[1G\x1B[2K\x1B[32m[bob]: yo\x1B[0m\n");
    let t = notice_and_prompt_text(None, Some(">"), Level::Info);
    assert_eq!(t, "> ");
    assert_eq!(notice_and_prompt_text(None, None, Level::Info), "");
    assert_eq!(level_color(Level::Info), "\x1B[33m");
}

#[test]
fn chat_notices_read_as_the_chat_writes_them() {
    let n = ChatNotice::Registered("127.0.0.1:50000".to_string(), 8080, "bob".to_string());
    assert_eq!(chat_notice_text(&n), "[system]127.0.0.1:50000(bind_port:8080) as name bob");
    assert_eq!(chat_notice_level(&n), Level::System);
    let n = ChatNotice::Said("bob".to_string(), "hello".to_string());
    assert_eq!(chat_notice_text(&n), "[bob]: hello");
    assert_eq!(chat_notice_level(&n), Level::User);
    let n = ChatNotice::SendingFile("bob".to_string(), "a.txt".to_string(), "12".to_string());
    assert_eq!(chat_notice_text(&n), "[system]bob is sending file: a.txt, size: 12");
    assert_eq!(chat_notice_text(&ChatNotice::Left("1.2.3.4:5".to_string())), "[system]1.2.3.4:5 disconnected.");
    assert_eq!(chat_notice_text(&ChatNotice::NoSuchFile("x".to_string())), "[system]x does not exists");
    assert_eq!(chat_notice_text(&ChatNotice::TooLong), "[system]Input message is too long!");
}

#[test]
fn decimal_text_writes_numbers() {
    assert_eq!(decimal_text(0), "0");
    assert_eq!(decimal_text(7), "7");
    assert_eq!(decimal_text(1234567890), "1234567890");
    assert_eq!(decimal_text(u64::MAX), u64::MAX.to_string());
}

#[test]
fn parse_usize_reads_as_from_str() {
    assert_eq!(parse_usize("42"), Some(42));
    assert_eq!(parse_usize("+7"), Some(7));
    assert_eq!(parse_usize("007"), Some(7));
    assert_eq!(parse_usize("+"), None);
    assert_eq!(parse_usize(""), None);
    assert_eq!(parse_usize("-1"), None);
    assert_eq!(parse_usize("12a"), None);
    assert_eq!(parse_usize(" 1"), None);
    assert_eq!(parse_usize(&usize::MAX.to_string()), Some(usize::MAX));
    let over = format!("{}0", usize::MAX);
    assert_eq!(parse_usize(&over), None);
    for s in ["0", "99", "+5", "x", "", "1_0"] {
        assert_eq!(parse_usize(s), s.parse::<usize>().ok());
    }
}

#[test]
fn decimal_round_trip() {
    for n in [0u64, 9, 10, 65535, 4294967296] {
        assert_eq!(parse_usize(&decimal_text(n)), Some(n as usize));
    }
}

#[test]
fn white_space_text_helpers() {
    assert!(is_whitespace('\u{3000}'));
    assert!(is_whitespace('\n'));
    assert!(!is_whitespace('a'));
    assert_eq!(trim("  a b \n"), "a b");
    assert_eq!(trim(" \t "), "");
    assert_eq!(trim("\u{a0}x\u{2028}"), "x");
    assert_eq!(split_once_white("abc 123"), Some(("abc".to_string(), "123".to_string())));
    assert_eq!(split_once_white("abc123"), None);
    assert_eq!(split_once_white(" abc123"), Some(("".to_string(), "abc123".to_string())));
    assert_eq!(split_once_white("abc123 "), Some(("abc123".to_string(), "".to_string())));
    assert_eq!(remove_white("1.2.3.4 : 80\n"), "1.2.3.4:80");
    assert_eq!(split_words("  message  bob hi \n"), ("".to_string(), "message  bob hi".to_string()));
    assert_eq!(split_words("list"), ("list".to_string(), "".to_string()));
}

#[test]
fn chat_commands() {
    match parse_chat_command("message bob hello world\n") {
        Command::Message(t, c) => {
            assert_eq!(t, "bob");
            assert_eq!(c, "hello world");
        },
        other => panic!("{:?}", other),
    }
    match parse_chat_command("connect 127.0.0.1 : 8080\n") {
        Command::Connect(a) => assert_eq!(a, "127.0.0.1:8080"),
        other => panic!("{:?}", other),
    }
    match parse_chat_command("  lookup  b o b \n") {
        Command::Lookup(a) => assert_eq!(a, "bob"),
        other => panic!("{:?}", other),
    }
    match parse_chat_command("file bob  ./my file.txt \n") {
        Command::File(t, p) => {
            assert_eq!(t, "bob");
            assert_eq!(p, "./my file.txt");
        },
        other => panic!("{:?}", other),
    }
    assert!(matches!(parse_chat_command(""), Command::Skip));
    assert!(matches!(parse_chat_command("quit\n"), Command::Quit));
    assert!(matches!(parse_chat_command("list\n"), Command::List));
    assert!(matches!(parse_chat_command("message bob\n"), Command::Nothing));
    assert!(matches!(parse_chat_command("hello there\n"), Command::Nothing));
    assert!(matches!(parse_chat_command("\n"), Command::Nothing));
    let long = "a".repeat(1025);
    assert!(matches!(parse_chat_command(&long), Command::TooLong));
    let edge = "a".repeat(1024);
    assert!(matches!(parse_chat_command(&edge), Command::Nothing));
    let wide = "é".repeat(513);
    assert!(matches!(parse_chat_command(&wide), Command::TooLong));
}

#[test]
fn contact_and_peer_commands() {
    assert!(matches!(parse_contact_command("lookup bob\n"), Command::Nothing));
    assert!(matches!(parse_contact_command("list\n"), Command::List));
    match parse_contact_command(" message 1.2.3.4:5 hi there\n") {
        Command::Message(t, c) => {
            assert_eq!(t, "1.2.3.4:5");
            assert_eq!(c, "hi there");
        },
        other => panic!("{:?}", other),
    }
    assert!(matches!(parse_contact_command(""), Command::Skip));
    assert!(matches!(parse_peer_command("hello\n"), Command::Send));
    assert!(matches!(parse_peer_command("quit\n"), Command::Quit));
    assert!(matches!(parse_peer_command(" quit\n"), Command::Send));
    match parse_peer_command("connect 127.0.0.1:9000\n") {
        Command::Connect(a) => assert_eq!(a, "127.0.0.1:9000"),
        other => panic!("{:?}", other),
    }
    match parse_peer_command("connect\n") {
        Command::Connect(a) => assert_eq!(a, ""),
        other => panic!("{:?}", other),
    }
}

#[test]
fn contact_list_sorts_and_finds() {
    let mut list: Vec<(PeerAddress, &str)> = Vec::new();
    contact_list_push(&mut list, (v4(10, 0, 0, 2, 80), "c"));
    contact_list_push(&mut list, (v4(10, 0, 0, 1, 90), "b"));
    contact_list_push(&mut list, (v4(10, 0, 0, 1, 80), "a"));
    assert_eq!(list.iter().map(|e| e.1).collect::<Vec<_>>(), vec!["c", "b", "a"]);
    let i = contact_list_get_stream_by_socket_address(&mut list, v4(10, 0, 0, 1, 90));
    assert_eq!(list.iter().map(|e| e.1).collect::<Vec<_>>(), vec!["a", "b", "c"]);
    assert_eq!(i, Some(1));
    assert_eq!(contact_list_get_stream_by_socket_address(&mut list, v4(10, 0, 0, 3, 80)), None);
    contact_list_remove(&mut list, (v4(10, 0, 0, 1, 80), "ignored"));
    assert_eq!(list.iter().map(|e| e.1).collect::<Vec<_>>(), vec!["b", "c"]);
}

#[test]
fn contact_list_orders_v4_before_v6_and_keeps_equal_addresses_in_order() {
    let six = PeerAddress { v6: true, ip: 1, port: 1, flowinfo: 0, scope_id: 0 };
    let mut list = vec![(six, 1), (v4(255, 255, 255, 255, 65535), 2), (six, 3), (v4(0, 0, 0, 0, 0), 4)];
    let i = contact_list_get_stream_by_socket_address(&mut list, six);
    assert_eq!(list.iter().map(|e| e.1).collect::<Vec<_>>(), vec![4, 2, 1, 3]);
    assert_eq!(i, Some(2));
    contact_list_remove(&mut list, (six, 0));
    assert_eq!(list.iter().map(|e| e.1).collect::<Vec<_>>(), vec![4, 2, 3]);
}

#[test]
fn pushed_then_removed_contact_leaves_the_others_sorted() {
    let mut list = vec![(v4(9, 9, 9, 9, 1), 'x'), (v4(1, 1, 1, 1, 1), 'y')];
    let fresh = v4(5, 5, 5, 5, 5);
    contact_list_push(&mut list, (fresh, 'z'));
    assert!(contact_list_get_stream_by_socket_address(&mut list, fresh).is_some());
    contact_list_remove(&mut list, (fresh, 'z'));
    assert_eq!(list, vec![(v4(1, 1, 1, 1, 1), 'y'), (v4(9, 9, 9, 9, 1), 'x')]);
    let before = list.clone();
    let _ = contact_list_get_stream_by_socket_address(&mut list, fresh);
    assert_eq!(list, before);
}

fn step(state: PeerState, event: PeerEvent) -> (PeerState, PeerAction) {
    assert!(!is_unreadable(&state, &event));
    peer_step_exec(state, event)
}

#[test]
fn registration_is_read_back() {
    let m = registration_message("alice", "127.0.0.1:7000");
    assert_eq!(m, "0alice 127.0.0.1:7000");
    let bytes = m.as_bytes();
    let (s, a) = step(PeerState::AwaitHead, PeerEvent::Head(bytes[0]));
    assert!(matches!(s, PeerState::AwaitRegistration));
    assert!(matches!(a, PeerAction::Nothing));
    let (s, a) = step(s, PeerEvent::Chunk(bytes[1..].to_vec()));
    assert!(matches!(s, PeerState::AwaitHead));
    match a {
        PeerAction::Register(n, addr) => {
            assert_eq!(n, "alice");
            assert_eq!(addr, "127.0.0.1:7000");
        },
        other => panic!("{:?}", other),
    }
}

#[test]
fn registration_edge_cases() {
    let (_, a) = step(PeerState::AwaitRegistration, PeerEvent::Chunk(b"  bob\n".to_vec()));
    assert!(matches!(a, PeerAction::Nothing));
    let (_, a) = step(PeerState::AwaitRegistration, PeerEvent::Chunk(b" bob  1.2.3.4:5 \n".to_vec()));
    match a {
        PeerAction::Register(n, addr) => {
            assert_eq!(n, "bob");
            assert_eq!(addr, " 1.2.3.4:5");
        },
        other => panic!("{:?}", other),
    }
    assert!(is_unreadable(&PeerState::AwaitRegistration, &PeerEvent::Chunk(vec![0xff, 0x20, 0x41])));
    assert!(is_unreadable(&PeerState::AwaitText, &PeerEvent::Chunk(vec![0xc3])));
    assert!(!is_unreadable(&PeerState::AwaitHead, &PeerEvent::Chunk(vec![0xff])));
    let (s, a) = step(PeerState::AwaitRegistration, PeerEvent::ChunkFailed);
    assert!(matches!(s, PeerState::Closed));
    assert!(matches!(a, PeerAction::Drop));
}

#[test]
fn text_and_lookup_are_read_back() {
    let m = text_message("héllo  ");
    assert_eq!(m, "1héllo  ");
    let bytes = m.as_bytes();
    let (s, _) = step(PeerState::AwaitHead, PeerEvent::Head(bytes[0]));
    assert!(matches!(s, PeerState::AwaitText));
    let (s, a) = step(s, PeerEvent::Chunk(bytes[1..].to_vec()));
    assert!(matches!(s, PeerState::AwaitHead));
    match a {
        PeerAction::Show(t) => assert_eq!(t, "héllo  "),
        other => panic!("{:?}", other),
    }
    let (s, a) = step(PeerState::AwaitText, PeerEvent::ChunkFailed);
    assert!(matches!(s, PeerState::AwaitHead));
    assert!(matches!(a, PeerAction::Drop));
    let l = lookup_request();
    assert_eq!(l, "2");
    let (s, a) = step(PeerState::AwaitHead, PeerEvent::Head(l.as_bytes()[0]));
    assert!(matches!(s, PeerState::AwaitHead));
    assert!(matches!(a, PeerAction::ReplyContactList));
    let (s, a) = step(PeerState::AwaitHead, PeerEvent::Head(b'9'));
    assert!(matches!(s, PeerState::AwaitHead));
    assert!(matches!(a, PeerAction::Nothing));
}

#[test]
fn head_failures_close_the_connection() {
    for f in [Failure::ConnectionAborted, Failure::ConnectionReset, Failure::Other] {
        let (s, a) = step(PeerState::AwaitHead, PeerEvent::HeadFailed(f));
        assert!(matches!(s, PeerState::Closed));
        match a {
            PeerAction::Close(g) => assert_eq!(g, f),
            other => panic!("{:?}", other),
        }
    }
    let (s, a) = step(PeerState::Closed, PeerEvent::Head(b'0'));
    assert!(matches!(s, PeerState::Closed));
    assert!(matches!(a, PeerAction::Nothing));
}

#[test]
fn file_header_is_read_back() {
    let h = file_header("notes.txt", 1234);
    assert_eq!(h, "3notes.txt 1234\n");
    let (s, _) = step(PeerState::AwaitHead, PeerEvent::Head(h.as_bytes()[0]));
    assert!(matches!(s, PeerState::AwaitFileHeader));
    let (s, a) = step(s, PeerEvent::Line(h[1..].to_string()));
    match &s {
        PeerState::FileAnnounced(n, size) => {
            assert_eq!(n, "notes.txt");
            assert_eq!(size, "1234");
        },
        other => panic!("{:?}", other),
    }
    match a {
        PeerAction::AnnounceFile(n, size) => {
            assert_eq!(n, "notes.txt");
            assert_eq!(size, "1234");
        },
        other => panic!("{:?}", other),
    }
    let (s, a) = step(s, PeerEvent::Proceed);
    assert!(matches!(a, PeerAction::Nothing));
    match &s {
        PeerState::AwaitFileBody(n, l) => {
            assert_eq!(n, "notes.txt");
            assert_eq!(*l, 1234);
        },
        other => panic!("{:?}", other),
    }
    let (s, a) = step(s, PeerEvent::Body(vec![1, 2, 3]));
    assert!(matches!(s, PeerState::AwaitHead));
    match a {
        PeerAction::SaveFile(n, b) => {
            assert_eq!(n, "notes.txt");
            assert_eq!(b, vec![1, 2, 3]);
        },
        other => panic!("{:?}", other),
    }
}

#[test]
fn file_header_edge_cases() {
    let (s, a) = step(PeerState::AwaitFileHeader, PeerEvent::Line(String::new()));
    assert!(matches!(s, PeerState::AwaitHead));
    assert!(matches!(a, PeerAction::Nothing));
    assert!(is_unreadable(&PeerState::AwaitFileHeader, &PeerEvent::Line("nospace".to_string())));
    let (s, a) = step(PeerState::AwaitFileHeader, PeerEvent::Line("a.txt big\n".to_string()));
    match a {
        PeerAction::AnnounceFile(n, size) => {
            assert_eq!(n, "a.txt");
            assert_eq!(size, "big");
        },
        other => panic!("{:?}", other),
    }
    assert!(is_unreadable(&s, &PeerEvent::Proceed));
    let announced = PeerState::FileAnnounced("a.txt".to_string(), "+7".to_string());
    assert!(!is_unreadable(&announced, &PeerEvent::Proceed));
    let (s, _) = step(announced, PeerEvent::Proceed);
    assert!(matches!(s, PeerState::AwaitFileBody(_, 7)));
}

#[test]
fn file_header_for_a_path_uses_its_file_name() {
    let (n, h) = file_header_for("some/dir/report.pdf", 42);
    assert_eq!(n, "report.pdf");
    assert_eq!(h, "3report.pdf 42\n");
    assert_eq!(
        try_file_header_for("report.pdf", 7),
        Some(("report.pdf".to_string(), "3report.pdf 7\n".to_string()))
    );
    assert_eq!(try_file_header_for("/", 1), None);
    assert_eq!(try_file_header_for("a/..", 1), None);
}

#[test]
fn save_paths() {
    assert_eq!(save_path_parts("report.txt"), ("report".to_string(), "txt".to_string()));
    assert_eq!(save_path_parts("dir/archive.tar.gz"), ("archive.tar".to_string(), "gz".to_string()));
    assert_eq!(try_save_path_parts("a."), Some(("a".to_string(), "".to_string())));
    assert_eq!(try_save_path_parts(".x.y"), Some((".x".to_string(), "y".to_string())));
    assert_eq!(try_save_path_parts("noext"), None);
    assert_eq!(try_save_path_parts("README"), None);
    assert_eq!(try_save_path_parts(".bashrc"), None);
    assert_eq!(try_save_path_parts(".."), None);
    assert_eq!(plain_save_path("/home/u", "report", "txt"), "/home/u/report.txt");
    assert_eq!(split_numbered_stem("a_1"), ("a_1".to_string(), 0));
    assert_eq!(split_numbered_stem("7_x"), ("x".to_string(), 7));
    assert_eq!(split_numbered_stem("photo_x"), ("photo_x".to_string(), 0));
    assert_eq!(split_numbered_stem("a_12_b"), ("a_12_b".to_string(), 0));
    assert_eq!(split_numbered_stem("3_4_b"), ("3_4_b".to_string(), 0));
    assert_eq!(split_numbered_stem("12_b"), ("b".to_string(), 12));
    assert_eq!(split_numbered_stem("plain"), ("plain".to_string(), 0));
    assert_eq!(split_numbered_stem("5_"), ("".to_string(), 5));
    assert_eq!(next_save_path("/d", "photo", 3, "jpg"), Some((4, "/d/photo_4.jpg".to_string())));
    assert_eq!(next_save_path("/d", "photo", usize::MAX, "jpg"), None);
}

#[test]
fn numbered_stem_round_trip() {
    for (i, head) in [(0usize, "photo"), (17, "ab"), (5, "")] {
        let stem = format!("{}_{}", i, head);
        assert_eq!(split_numbered_stem(&stem), (head.to_string(), i));
    }
}

#[test]
fn taken_names_are_numbered_as_the_chat_numbers_them() {
    let (head, i) = split_numbered_stem("a_1");
    assert_eq!(next_save_path("/d", &head, i, "txt"), Some((1, "/d/a_1_1.txt".to_string())));
    let (head, i) = split_numbered_stem("7_x");
    assert_eq!(next_save_path("/d", &head, i, "txt"), Some((8, "/d/x_8.txt".to_string())));
}

#[test]
fn close_announcements() {
    assert_eq!(close_announcement(Failure::ConnectionAborted), Some(None));
    assert_eq!(close_announcement(Failure::ConnectionReset), Some(Some(">")));
    assert_eq!(close_announcement(Failure::Other), None);
}

#[test]
fn echo_server_reply() {
    assert_eq!(server_reply(b"hi there"), "Server:hi there");
    assert_eq!(server_reply(b""), "Server:");
    assert!(!is_utf8(&[0xc3]));
    assert!(is_utf8("é".as_bytes()));
}

#[test]
fn reader_actions() {
    assert!(matches!(reader_step(&ReadOutcome::Data(vec![])), ReaderAction::Disconnect));
    assert!(matches!(reader_step(&ReadOutcome::WouldBlock), ReaderAction::Wait));
    assert!(matches!(reader_step(&ReadOutcome::Failed), ReaderAction::Disconnect));
    assert!(is_unreadable_outcome(&ReadOutcome::Data(vec![0xfe])));
    assert!(!is_unreadable_outcome(&ReadOutcome::Data(vec![])));
    assert!(!is_unreadable_outcome(&ReadOutcome::Failed));
    match reader_step(&ReadOutcome::Data(b"  hey \r\n".to_vec())) {
        ReaderAction::Show(t) => assert_eq!(t, "hey"),
        other => panic!("{:?}", other),
    }
}

#[test]
fn ad_sets_one() {
    let mut x = 0;
    ad(&mut x);
    assert_eq!(x, 1);
    let mut y = -5;
    ad(&mut y);
    assert_eq!(y, 1);
}

#[test]
fn received_texts() {
    assert_eq!(received_text(b" hi \n"), "hi");
    assert_eq!(received_text(b""), "");
    assert_eq!(text_lossy(b"ok\n"), "ok\n");
    assert_eq!(text_lossy(&[b'a', 0xff, b'b']), "a\u{FFFD}b");
    assert_eq!(received_text_lossy(&[b' ', 0xff, b' ']), "\u{FFFD}");
}

#[test]
fn connect_requests() {
    assert!(is_connect_request("connect\n"));
    assert!(is_connect_request("  connect "));
    assert!(!is_connect_request("connect now\n"));
    assert!(!is_connect_request("hello\n"));
}

fn run(events: Vec<PeerEvent>) -> (PeerState, Vec<String>) {
    let mut state = PeerState::AwaitHead;
    let mut actions = Vec::new();
    for e in events {
        let (s, a) = step(state, e);
        state = s;
        actions.push(format!("{:?}", a));
    }
    (state, actions)
}

#[test]
fn skipped_bytes_change_nothing_and_a_registration_run_ends_closed() {
    let m = registration_message("alice", "127.0.0.1:7000");
    let bytes = m.as_bytes();
    let tail = || {
        vec![
            PeerEvent::Head(bytes[0]),
            PeerEvent::Chunk(bytes[1..].to_vec()),
            PeerEvent::HeadFailed(Failure::Other),
        ]
    };
    let (s1, a1) = run(tail());
    assert!(matches!(s1, PeerState::Closed));
    assert_eq!(
        a1,
        vec![
            "Nothing".to_string(),
            "Register(\"alice\", \"127.0.0.1:7000\")".to_string(),
            "Close(Other)".to_string()
        ]
    );
    let mut with_prefix = vec![PeerEvent::Head(b'x'), PeerEvent::Head(b'\n'), PeerEvent::Head(0xff)];
    with_prefix.extend(tail());
    let (s2, a2) = run(with_prefix);
    assert!(matches!(s2, PeerState::Closed));
    assert_eq!(a2[..3], ["Nothing".to_string(), "Nothing".to_string(), "Nothing".to_string()]);
    assert_eq!(a2[3..], a1[..]);
}

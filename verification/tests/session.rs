use kitwin::session::{parse, state_file_contents, state_file_name, valid_name, Role, State};

fn sample(jwm: Option<u32>, sink: Option<&str>, server: Option<&str>) -> State {
    State {
        display: 99,
        width: 1920,
        height: 1176,
        xvfb_pid: 4242,
        jwm_pid: jwm,
        pulse_sink: sink.map(|s| s.to_string()),
        pulse_server: server.map(|s| s.to_string()),
    }
}

fn same(a: &State, b: &State) -> bool {
    a.display == b.display
        && a.width == b.width
        && a.height == b.height
        && a.xvfb_pid == b.xvfb_pid
        && a.jwm_pid == b.jwm_pid
        && a.pulse_sink == b.pulse_sink
        && a.pulse_server == b.pulse_server
}

#[test]
fn state_file_lists_keys_in_order() {
    let s = sample(Some(4243), Some("kitwin_1"), None);
    assert_eq!(
        state_file_contents(&s),
        "display=99\nwidth=1920\nheight=1176\nxvfb_pid=4242\njwm_pid=4243\npulse_sink=kitwin_1\n"
    );
    let t = sample(None, None, None);
    assert_eq!(state_file_contents(&t), "display=99\nwidth=1920\nheight=1176\nxvfb_pid=4242\n");
}

#[test]
fn state_file_reads_back() {
    for s in [
        sample(None, None, None),
        sample(Some(7), Some("a=b"), Some("unix:/run/user/1000/pulse/native")),
        sample(Some(0), Some(""), Some("127.0.0.1:4713")),
    ] {
        let text = state_file_contents(&s);
        let back = parse(&text).unwrap();
        assert!(same(&s, &back));
    }
}

#[test]
fn parse_skips_noise_and_later_lines_win() {
    let text = "# comment\nwidth=10\r\nbogus=1\ndisplay=+7\nheight=20\nxvfb_pid=5\nwidth=30";
    let st = parse(text).unwrap();
    assert_eq!(st.display, 7);
    assert_eq!(st.width, 30);
    assert_eq!(st.height, 20);
    assert_eq!(st.xvfb_pid, 5);
    assert_eq!(st.jwm_pid, None);
}

#[test]
fn parse_needs_the_four_required_keys() {
    assert!(parse("display=1\nwidth=2\nheight=3\n").is_none());
    assert!(parse("").is_none());
    // A display number out of u8 range does not parse.
    assert!(parse("display=256\nwidth=2\nheight=3\nxvfb_pid=4\n").is_none());
    // A later bad value clears an earlier good one.
    assert!(parse("display=1\nwidth=2\nheight=3\nxvfb_pid=4\nxvfb_pid=x\n").is_none());
    // A bad optional value leaves it unset.
    let st = parse("display=1\nwidth=2\nheight=3\nxvfb_pid=4\njwm_pid=-1\n").unwrap();
    assert_eq!(st.jwm_pid, None);
}

#[test]
fn session_names() {
    assert!(valid_name("work"));
    assert!(valid_name("a-b_C9"));
    assert!(valid_name(&"x".repeat(64)));
    assert!(!valid_name(&"x".repeat(65)));
    assert!(!valid_name(""));
    assert!(!valid_name("../etc"));
    assert!(!valid_name("a/b"));
    assert!(!valid_name("a.b"));
    assert!(!valid_name("é"));
    assert_eq!(state_file_name("work"), "work.session");
}

#[test]
fn roles() {
    let r = Role::Attach(sample(None, None, None));
    assert!(matches!(r, Role::Attach(_)));
    assert!(matches!(Role::Create, Role::Create));
}

#[test]
fn session_names_filter_and_sort() {
    let files: Vec<String> = ["zeta.session", "notes.txt", ".session", "alpha.session", "a.b.session", "Beta.session", "x.session.tmp"]
        .iter()
        .map(|s| s.to_string())
        .collect();
    assert_eq!(kitwin::session::session_names(&files), vec!["Beta", "a.b", "alpha", "zeta"]);
    let own = state_file_name("work");
    assert_eq!(kitwin::session::session_names(&vec![own]), vec!["work"]);
    assert!(kitwin::session::session_names(&Vec::new()).is_empty());
}

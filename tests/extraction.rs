use chrome_cookie_reader::{
    collect_result, cookie_from_raw, domain_matches, executable_candidates, expiry_from_bits,
    extract_domain, find_chrome_executable, get_chrome_user_data_dir, get_user_info, greet,
    machine_code_hex, select_cookies, sort_by_name, user_data_dir_under, Action, Cookie,
    CookieError, Event, Extraction, Phase, RawCookie, SessionConfig,
};

fn raw(name: &str, domain: &str, expires: f64) -> RawCookie {
    RawCookie {
        name: name.to_string(),
        value: format!("v-{}", name),
        domain: domain.to_string(),
        path: "/".to_string(),
        expires_bits: expires.to_bits(),
        secure: true,
        http_only: false,
    }
}

fn names(v: &[Cookie]) -> Vec<String> {
    v.iter().map(|c| c.name.clone()).collect()
}

fn located() -> Event {
    Event::Located {
        user_data_dir: r"C:\Users\u\AppData\Local\Google\Chrome\User Data".to_string(),
        executable: r"C:\Program Files\Google\Chrome\Application\chrome.exe".to_string(),
    }
}

/// Runs a fresh extraction up to the point where it waits for cookies.
fn fetching(domain: &str) -> Extraction {
    let e = Extraction::new(domain, None);
    let (e, a) = e.step(located());
    assert!(matches!(a, Action::Launch(_)));
    let (e, a) = e.step(Event::Launched);
    assert!(matches!(a, Action::Fetch));
    assert!(e.session_open());
    e
}

#[test]
fn normalize_strips_scheme_www_and_path() {
    assert_eq!(extract_domain("https://www.Example.com/path"), "Example.com");
    assert_eq!(extract_domain("  example.org  "), "example.org");
    assert_eq!(extract_domain("http://a.b/c/d"), "a.b");
    assert_eq!(extract_domain("example.net"), "example.net");
    assert_eq!(extract_domain(""), "");
    assert_eq!(extract_domain("\t https://x.io \n"), "x.io");
}

#[test]
fn normalize_is_idempotent_on_examples() {
    for s in ["https://www.Example.com/path", "  example.org  ", "http://sub.a.b:8080/x", "a/b/c"] {
        let once = extract_domain(s);
        assert_eq!(extract_domain(&once), once);
    }
}

#[test]
fn normalize_twice_differs_on_nested_www() {
    let once = extract_domain("www.www.example.com");
    assert_eq!(once, "www.example.com");
    assert_eq!(extract_domain(&once), "example.com");
}

#[test]
fn matches_is_reflexive_after_normalization() {
    for d in ["https://www.Example.com/path", "example.org", ".x.y", "a"] {
        let n = extract_domain(d);
        assert!(domain_matches(&n, &n));
    }
}

#[test]
fn matches_leading_dot_and_subdomain() {
    assert!(domain_matches(".example.com", "example.com"));
    assert!(domain_matches("example.com", "sub.example.com"));
    assert!(domain_matches("sub.example.com", "example.com"));
    assert!(domain_matches("..example.com", ".example.com"));
}

#[test]
fn matches_substring_fallback_is_loose() {
    assert!(domain_matches("example.com", "notexample.comfoo"));
    assert!(!domain_matches("example.com", "other.com"));
    assert!(!domain_matches("a.org", "b.net"));
}

#[test]
fn expiry_mapping() {
    assert_eq!(expiry_from_bits(0.0f64.to_bits()), None);
    assert_eq!(expiry_from_bits((-0.0f64).to_bits()), None);
    assert_eq!(expiry_from_bits((-1.0f64).to_bits()), None);
    assert_eq!(expiry_from_bits(1700000000.9f64.to_bits()), Some(1700000000));
}

#[test]
fn expiry_mapping_edges() {
    assert_eq!(expiry_from_bits(f64::NAN.to_bits()), None);
    assert_eq!(expiry_from_bits(f64::INFINITY.to_bits()), Some(i64::MAX));
    assert_eq!(expiry_from_bits(0.5f64.to_bits()), Some(0));
    assert_eq!(expiry_from_bits(f64::MIN_POSITIVE.to_bits()), Some(0));
    assert_eq!(expiry_from_bits(1.0f64.to_bits()), Some(1));
    assert_eq!(expiry_from_bits(9007199254740993.0f64.to_bits()), Some(9007199254740992));
    assert_eq!(expiry_from_bits(4611686018427387904.0f64.to_bits()), Some(4611686018427387904));
    assert_eq!(expiry_from_bits(1e300f64.to_bits()), Some(i64::MAX));
    for x in [3.7f64, 12345.999, 1e15, 8.5e18, 9.3e18] {
        assert_eq!(expiry_from_bits(x.to_bits()), Some(x as i64));
    }
}

#[test]
fn raw_record_becomes_cookie() {
    let c = cookie_from_raw(raw("sid", ".example.com", 1700000000.9));
    assert_eq!(c.name, "sid");
    assert_eq!(c.value, "v-sid");
    assert_eq!(c.domain, ".example.com");
    assert_eq!(c.path, "/");
    assert_eq!(c.expires, Some(1700000000));
    assert!(c.is_secure);
    assert!(!c.is_http_only);
    let s = cookie_from_raw(raw("tmp", "example.com", -1.0));
    assert_eq!(s.expires, None);
}

#[test]
fn select_keeps_matching_in_order() {
    let got = select_cookies(
        vec![raw("b", "example.com", 0.0), raw("x", "other.com", 0.0), raw("a", ".example.com", 0.0)],
        "example.com",
    );
    assert_eq!(names(&got), vec!["b", "a"]);
}

#[test]
fn sort_orders_by_name() {
    let v: Vec<Cookie> = ["z", "a", "M", "b", "a"]
        .iter()
        .map(|n| cookie_from_raw(raw(n, "example.com", 0.0)))
        .collect();
    assert_eq!(names(&sort_by_name(v)), vec!["M", "a", "a", "b", "z"]);
    assert!(sort_by_name(Vec::new()).is_empty());
}

#[test]
fn collect_filters_and_sorts() {
    let r = collect_result(
        vec![
            raw("zeta", "example.com", 0.0),
            raw("other", "other.com", 0.0),
            raw("alpha", ".example.com", 1700000000.9),
        ],
        "example.com",
    );
    let v = r.unwrap();
    assert_eq!(names(&v), vec!["alpha", "zeta"]);
    assert_eq!(v[0].expires, Some(1700000000));
}

#[test]
fn collect_with_nothing_matching_is_no_cookies() {
    let r = collect_result(vec![raw("o", "other.com", 0.0)], "example.com");
    assert_eq!(r, Err(CookieError::NoCookies));
    assert_eq!(collect_result(Vec::new(), "example.com"), Err(CookieError::NoCookies));
}

#[test]
fn pipeline_filters_and_sorts_after_closing() {
    let e = fetching("https://www.example.com/login");
    assert_eq!(e.target, "example.com");
    let (e, a) = e.step(Event::Fetched(vec![
        raw("b", "example.com", 0.0),
        raw("x", "other.com", 0.0),
        raw("a", ".example.com", 0.0),
    ]));
    assert!(matches!(a, Action::Close));
    assert!(e.session_open());
    let (e, a) = e.step(Event::Closed);
    assert!(!e.session_open());
    match a {
        Action::Finish(Ok(v)) => {
            assert_eq!(names(&v), vec!["a", "b"]);
            assert!(v.iter().all(|c| c.domain != "other.com"));
        }
        _ => panic!("expected cookies"),
    }
}

#[test]
fn pipeline_zero_matches_is_no_cookies() {
    let e = fetching("example.com");
    let (e, a) = e.step(Event::Fetched(vec![raw("x", "other.com", 0.0)]));
    assert!(matches!(a, Action::Close));
    let (_, a) = e.step(Event::Closed);
    assert!(matches!(a, Action::Finish(Err(CookieError::NoCookies))));
}

#[test]
fn pipeline_locator_failure_never_launches() {
    let e = Extraction::new("example.com", None);
    let (e, a) = e.step(Event::LocateFailed(CookieError::ChromeNotFound));
    assert!(matches!(a, Action::Finish(Err(CookieError::ChromeNotFound))));
    assert!(!e.session_open());
    let (e, a) = e.step(located());
    assert!(matches!(a, Action::Ignore));
    assert!(matches!(e.phase, Phase::Done));
}

#[test]
fn pipeline_fetch_failure_closes_before_error() {
    let e = fetching("example.com");
    let (e, a) = e.step(Event::FetchFailed("boom".to_string()));
    assert!(matches!(a, Action::Close));
    assert!(e.session_open());
    let (e, a) = e.step(Event::Closed);
    assert!(!e.session_open());
    match a {
        Action::Finish(Err(CookieError::Other(d))) => assert_eq!(d, "boom"),
        _ => panic!("expected Other"),
    }
}

#[test]
fn pipeline_launch_failure() {
    let e = Extraction::new("example.com", None);
    let (e, _) = e.step(located());
    let (e, a) = e.step(Event::LaunchFailed("no such file".to_string()));
    assert!(!e.session_open());
    match a {
        Action::Finish(Err(CookieError::BrowserLaunchFailed(d))) => assert_eq!(d, "no such file"),
        _ => panic!("expected BrowserLaunchFailed"),
    }
}

#[test]
fn pipeline_launch_configuration() {
    let e = Extraction::new("example.com", Some("Profile 1"));
    assert_eq!(e.profile, "Profile 1");
    let (_, a) = e.step(located());
    let config: SessionConfig = match a {
        Action::Launch(c) => c,
        _ => panic!("expected Launch"),
    };
    assert_eq!(config.profile, "Profile 1");
    assert_eq!(config.executable, r"C:\Program Files\Google\Chrome\Application\chrome.exe");
    assert_eq!(
        config.launch_args(),
        vec![
            "--profile-directory=Profile 1",
            "--headless=new",
            "--disable-gpu",
            "--no-first-run",
            "--disable-extensions",
            "--disable-logging",
            "--log-level=3",
        ]
    );
    assert_eq!(Extraction::new("x", None).profile, "Default");
}

#[test]
fn pipeline_ignores_out_of_order_events() {
    let e = Extraction::new("example.com", None);
    let (e, a) = e.step(Event::Closed);
    assert!(matches!(a, Action::Ignore));
    assert!(matches!(e.phase, Phase::Locating));
}

#[test]
fn locator_paths() {
    assert_eq!(
        user_data_dir_under(r"C:\Users\u\AppData\Local"),
        r"C:\Users\u\AppData\Local\Google\Chrome\User Data"
    );
    assert_eq!(
        executable_candidates(Some(r"C:\L")),
        vec![
            r"C:\L\Google\Chrome\Application\chrome.exe",
            r"C:\Program Files\Google\Chrome\Application\chrome.exe",
            r"C:\Program Files (x86)\Google\Chrome\Application\chrome.exe",
        ]
    );
    assert_eq!(executable_candidates(None).len(), 2);
}

#[test]
fn locator_decisions() {
    assert_eq!(get_chrome_user_data_dir(Some(r"C:\L"), true), Ok(r"C:\L\Google\Chrome\User Data".to_string()));
    assert_eq!(get_chrome_user_data_dir(Some(r"C:\L"), false), Err(CookieError::ChromeNotFound));
    assert_eq!(get_chrome_user_data_dir(None, true), Err(CookieError::ChromeNotFound));
    assert_eq!(get_chrome_user_data_dir(None, false), Err(CookieError::ChromeNotFound));
    let probed = vec![("a".to_string(), false), ("b".to_string(), true), ("c".to_string(), true)];
    assert_eq!(find_chrome_executable(&probed), Ok("b".to_string()));
    let none = vec![("a".to_string(), false)];
    assert_eq!(find_chrome_executable(&none), Err(CookieError::ChromeNotFound));
    assert_eq!(find_chrome_executable(&Vec::new()), Err(CookieError::ChromeNotFound));
}

#[test]
fn error_messages() {
    assert_eq!(CookieError::ChromeNotFound.message(), "未检测到 Chrome 浏览器");
    assert_eq!(CookieError::BrowserLaunchFailed("x".to_string()).message(), "浏览器启动失败: x");
    assert_eq!(CookieError::NoCookies.message(), "该域名下没有 Cookie");
    assert_eq!(CookieError::Other("y".to_string()).message(), "y");
}

#[test]
fn demo_commands() {
    assert_eq!(greet("世界"), "你好，世界！来自 Rust 后端的问候。");
    let u = get_user_info();
    assert_eq!(u.name, "测试用户");
    assert_eq!(u.age, 18);
    assert_eq!(machine_code_hex(0xdeadbeef), "00000000deadbeef");
    assert_eq!(machine_code_hex(u64::MAX), "ffffffffffffffff");
    assert_eq!(machine_code_hex(0), "0000000000000000");
}

#[test]
fn pipeline_timeouts() {
    let e = Extraction::new("example.com", None);
    let (e, _) = e.step(located());
    let (e, a) = e.step(Event::TimedOut);
    assert!(!e.session_open());
    assert!(matches!(a, Action::Finish(Err(CookieError::Other(ref d))) if d == "timeout"));

    let e = fetching("example.com");
    let (e, a) = e.step(Event::TimedOut);
    assert!(matches!(a, Action::Close));
    assert!(e.session_open());
    let (e, a) = e.step(Event::Closed);
    assert!(!e.session_open());
    assert!(matches!(a, Action::Finish(Err(CookieError::Other(ref d))) if d == "timeout"));
}

#[test]
fn sort_keeps_arrival_order_for_equal_names() {
    let v: Vec<Cookie> = [("sid", "a.example.com"), ("id", "x.example.com"), ("sid", "b.example.com"), ("sid", "c.example.com")]
        .iter()
        .map(|(n, d)| cookie_from_raw(raw(n, d, 0.0)))
        .collect();
    let sorted = sort_by_name(v);
    let got: Vec<(String, String)> = sorted.iter().map(|c| (c.name.clone(), c.domain.clone())).collect();
    assert_eq!(
        got,
        vec![
            ("id".to_string(), "x.example.com".to_string()),
            ("sid".to_string(), "a.example.com".to_string()),
            ("sid".to_string(), "b.example.com".to_string()),
            ("sid".to_string(), "c.example.com".to_string()),
        ]
    );
}

#[test]
fn collect_keeps_browser_order_for_equal_names() {
    let r = collect_result(
        vec![
            raw("sid", "example.com", 0.0),
            raw("sid", "other.com", 0.0),
            raw("sid", ".example.com", 0.0),
            raw("a", "sub.example.com", 0.0),
        ],
        "example.com",
    );
    let domains: Vec<String> = r.unwrap().iter().map(|c| c.domain.clone()).collect();
    assert_eq!(domains, vec!["sub.example.com", "example.com", ".example.com"]);
}

use trivianetdmr::qrz::HttpOutcome;
use trivianetdmr::qrz::LookupStep;
use trivianetdmr::qrz::QrzClient;
use trivianetdmr::qrz::SessionStep;
use trivianetdmr::qrz::XmlNode;

#[test]
fn test_mock_data_generation() {
    let data1 = QrzClient::get_mock_data("K1ABC");
    assert_eq!(data1.name.unwrap(), "Alice Newhaven");
    assert_eq!(data1.location.unwrap(), "Boston, MA, USA");
    assert!(data1.is_mock);

    let data6 = QrzClient::get_mock_data("W6XYZ");
    assert_eq!(data6.name.unwrap(), "Frank Golden");
    assert_eq!(data6.location.unwrap(), "San Francisco, CA, USA");

    let data_ve = QrzClient::get_mock_data("VE3AAA");
    assert_eq!(data_ve.name.unwrap(), "Maple Leaf");
    assert_eq!(data_ve.location.unwrap(), "Toronto, ON, Canada");
}

#[test]
fn test_parse_xml() {
    let xml = r#"
        <QRZDatabase version="1.34">
          <Callsign>
            <call>W1AW</call>
            <fname>Hiram</fname>
            <name>Maxim</name>
            <addr2>Newington</addr2>
            <state>CT</state>
            <country>United States</country>
          </Callsign>
        </QRZDatabase>
        "#;

    let res = QrzClient::parse_qrz_xml("W1AW", xml).unwrap();
    assert_eq!(res.name.unwrap(), "Hiram Maxim");
    assert_eq!(res.location.unwrap(), "Newington, CT, United States");
    assert!(!res.is_mock);
}

#[test]
fn mock_profiles_by_region() {
    let cases = [
        ("va7xyz", "Maple Leaf", "Toronto, ON, Canada"),
        (" g4abc ", "Arthur Pendragon", "London, UK"),
        ("M0XYZ", "Arthur Pendragon", "London, UK"),
        ("DL1ABC", "Dieter Munich", "Berlin, Germany"),
        ("JA1XYZ", "Yoshi Tokyo", "Tokyo, Japan"),
        ("F5ABC", "Pierre Paris", "Paris, France"),
        ("N2XX", "Bob Jersey", "Newark, NJ, USA"),
        ("KB3X", "Charlie Keystone", "Philadelphia, PA, USA"),
        ("W4A", "David Dixie", "Atlanta, GA, USA"),
        ("K5A", "Emma Ranger", "Austin, TX, USA"),
        ("K7A", "George Cascade", "Seattle, WA, USA"),
        ("KC8WXM", "Hannah Buckeye", "Cleveland, OH, USA"),
        ("W9A", "Ian Badger", "Madison, WI, USA"),
        ("K0A", "Jack Rockies", "Denver, CO, USA"),
        ("NOCALL", "Global Op", "Unknown DXCC"),
        ("D2A", "Bob Jersey", "Newark, NJ, USA"),
    ];
    for (call, name, location) in cases {
        let d = QrzClient::get_mock_data(call);
        assert_eq!(d.callsign, call.trim().to_uppercase());
        assert_eq!(d.name.as_deref(), Some(name), "{}", call);
        assert_eq!(d.location.as_deref(), Some(location), "{}", call);
        assert!(d.is_mock);
    }
}

#[test]
fn xml_location_and_name_variants() {
    let xml = "<QRZDatabase><Callsign><name>Smith</name><state>OH</state><country>USA</country></Callsign><fname>Outside</fname></QRZDatabase>";
    let res = QrzClient::parse_qrz_xml("K8A", xml).unwrap();
    assert_eq!(res.callsign, "K8A");
    assert_eq!(res.name.as_deref(), Some("Smith"));
    assert_eq!(res.location.as_deref(), Some("OH, USA"));

    let xml = "<QRZDatabase><Callsign><fname>Ann</fname><addr2>Dayton</addr2></Callsign></QRZDatabase>";
    let res = QrzClient::parse_qrz_xml("K8B", xml).unwrap();
    assert_eq!(res.name.as_deref(), Some("Ann"));
    assert_eq!(res.location, None);

    let xml = "<QRZDatabase><Callsign><addr2>Dayton</addr2><country>USA</country></Callsign></QRZDatabase>";
    let res = QrzClient::parse_qrz_xml("K8C", xml).unwrap();
    assert_eq!(res.name, None);
    assert_eq!(res.location.as_deref(), Some("Dayton, USA"));
}

#[test]
fn xml_errors() {
    let xml = "<QRZDatabase><Session><Error>Session Timeout</Error></Session></QRZDatabase>";
    assert_eq!(QrzClient::parse_qrz_xml("W1AW", xml).unwrap_err(), "Session Timeout");

    let xml = "<QRZDatabase><Session><Error>Not found: W1XX</Error></Session></QRZDatabase>";
    assert_eq!(
        QrzClient::parse_qrz_xml("W1XX", xml).unwrap_err(),
        "Callsign W1XX not found in QRZ database"
    );

    let xml = "<QRZDatabase><Session><Error>Callsign not found</Error></Session></QRZDatabase>";
    assert_eq!(QrzClient::parse_qrz_xml("W1XX", xml).unwrap_err(), "Callsign not found");

    let err = QrzClient::parse_qrz_xml("W1AW", "<unclosed>").unwrap_err();
    assert!(err.starts_with("XML parse error: "), "{}", err);
}

#[test]
fn login_replies() {
    let ok = "<QRZDatabase><Session><Key>abc123</Key></Session></QRZDatabase>";
    assert_eq!(QrzClient::parse_login_xml(ok).unwrap(), "abc123");
    let bad = "<QRZDatabase><Session><Error>Username/password incorrect</Error></Session></QRZDatabase>";
    assert_eq!(QrzClient::parse_login_xml(bad).unwrap_err(), "Username/password incorrect");
    let empty_err = "<QRZDatabase><Session><Error/></Session></QRZDatabase>";
    assert_eq!(QrzClient::parse_login_xml(empty_err).unwrap_err(), "Unknown login error");
    let none = "<QRZDatabase><Session></Session></QRZDatabase>";
    assert_eq!(QrzClient::parse_login_xml(none).unwrap_err(), "No Session Key found in login XML");
    let empty_key = "<QRZDatabase><Session><Key></Key></Session></QRZDatabase>";
    assert_eq!(QrzClient::parse_login_xml(empty_key).unwrap_err(), "Empty Session Key");
    let err = QrzClient::parse_login_xml("<<").unwrap_err();
    assert!(err.starts_with("Login XML parse error: "), "{}", err);
}

#[test]
fn credentials_decide_mock_mode() {
    assert!(QrzClient::new(None, None).is_mocked());
    assert!(QrzClient::new(Some("k8abc".to_string()), Some("   ".to_string())).is_mocked());
    assert!(QrzClient::new(Some("".to_string()), Some("pw".to_string())).is_mocked());
    assert!(!QrzClient::new(Some("k8abc".to_string()), Some("pw".to_string())).is_mocked());
}

#[test]
fn lookup_steps() {
    let offline = QrzClient::new(None, None);
    match offline.begin_lookup(" k1abc ") {
        LookupStep::Done(Ok(d)) => {
            assert_eq!(d.callsign, "K1ABC");
            assert_eq!(d.name.as_deref(), Some("Alice Newhaven"));
            assert!(d.is_mock);
        }
        other => panic!("unexpected {:?}", matches!(other, LookupStep::Done(_))),
    }
    let online = QrzClient::new(Some("me".to_string()), Some("pw".to_string()));
    match online.begin_lookup(" k1abc ") {
        LookupStep::NeedSessionKey { callsign } => assert_eq!(callsign, "K1ABC"),
        _ => panic!("expected a session key request"),
    }
    match QrzClient::after_session_key("K1ABC", Ok("KEY".to_string())) {
        LookupStep::Query { callsign, url } => {
            assert_eq!(callsign, "K1ABC");
            assert_eq!(url, "https://xmldata.qrz.com/xml/current/?s=KEY;callsign=K1ABC");
        }
        _ => panic!("expected a query"),
    }
    match QrzClient::after_session_key("W6XYZ", Err("down".to_string())) {
        LookupStep::Done(Ok(d)) => {
            assert_eq!(d.name.as_deref(), Some("Frank Golden"));
            assert!(d.is_mock);
        }
        _ => panic!("expected the offline profile"),
    }
    let e = QrzClient::after_query("W1AW", HttpOutcome::SendFailed("timeout".to_string()));
    assert_eq!(e.unwrap_err(), "Request failed: timeout");
    let e = QrzClient::after_query("W1AW", HttpOutcome::ReadFailed("eof".to_string()));
    assert_eq!(e.unwrap_err(), "Failed to read response: eof");
    let body = "<QRZDatabase><Callsign><fname>Hiram</fname></Callsign></QRZDatabase>".to_string();
    let d = QrzClient::after_query("W1AW", HttpOutcome::Body(body)).unwrap();
    assert_eq!(d.name.as_deref(), Some("Hiram"));
}

#[test]
fn session_steps() {
    let online = QrzClient::new(Some("me".to_string()), Some("pw".to_string()));
    match online.session_key_step(Some(("cached".to_string(), 43199))) {
        SessionStep::UseCached(k) => assert_eq!(k, "cached"),
        _ => panic!("expected the cached key"),
    }
    match online.session_key_step(Some(("cached".to_string(), 43200))) {
        SessionStep::Login { url } => assert_eq!(
            url,
            "https://xmldata.qrz.com/xml/current/?username=me;password=pw;agent=TriviaNetDMR1.0"
        ),
        _ => panic!("expected a login"),
    }
    match QrzClient::new(None, Some("pw".to_string())).session_key_step(None) {
        SessionStep::Fail(m) => assert_eq!(m, "No QRZ username"),
        _ => panic!("expected a failure"),
    }
    match QrzClient::new(Some("me".to_string()), None).session_key_step(None) {
        SessionStep::Fail(m) => assert_eq!(m, "No QRZ password"),
        _ => panic!("expected a failure"),
    }
    assert_eq!(
        QrzClient::after_login(HttpOutcome::SendFailed("dns".to_string())).unwrap_err(),
        "Login request failed: dns"
    );
    assert_eq!(
        QrzClient::after_login(HttpOutcome::ReadFailed("eof".to_string())).unwrap_err(),
        "Login failed to read: eof"
    );
    let body = "<QRZDatabase><Session><Key>k</Key></Session></QRZDatabase>".to_string();
    assert_eq!(QrzClient::after_login(HttpOutcome::Body(body)).unwrap(), "k");
}

fn node(is_element: bool, name: &str, text: Option<&str>, depth: usize) -> XmlNode {
    XmlNode {
        is_element,
        name: name.to_string(),
        text: text.map(|t| t.to_string()),
        depth,
    }
}

#[test]
fn callsign_reply_from_nodes_stays_inside_the_record() {
    let nodes = vec![
        node(false, "", None, 1),
        node(true, "QRZDatabase", None, 2),
        node(true, "Callsign", None, 3),
        node(true, "name", Some("Maxim"), 4),
        node(false, "", Some("Maxim"), 5),
        node(true, "fname", Some("Hiram"), 2),
    ];
    let d = QrzClient::read_callsign_reply("W1AW", &nodes).unwrap();
    assert_eq!(d.name.as_deref(), Some("Maxim"));
    assert_eq!(d.location, None);
    assert!(!d.is_mock);

    let nodes = vec![node(true, "Error", None, 1)];
    assert_eq!(
        QrzClient::read_callsign_reply("K1X", &nodes).unwrap_err(),
        "Callsign K1X not found in QRZ database"
    );
    let nodes = vec![node(true, "Error", Some("Invalid session key / Session Timeout"), 1)];
    assert_eq!(
        QrzClient::read_callsign_reply("K1X", &nodes).unwrap_err(),
        "Invalid session key / Session Timeout"
    );
}

#[test]
fn login_reply_from_nodes() {
    let nodes = vec![node(false, "Key", Some("not an element"), 1), node(true, "Key", Some("k1"), 2)];
    assert_eq!(QrzClient::read_login_reply(&nodes).unwrap(), "k1");
    let nodes = vec![node(true, "Key", None, 1), node(true, "Error", Some("bad"), 2)];
    assert_eq!(QrzClient::read_login_reply(&nodes).unwrap_err(), "bad");
}

#[test]
fn login_result_fills_the_session_cache() {
    let mut cache: Option<(String, u64)> = None;
    let body = "<QRZDatabase><Session><Key>fresh</Key></Session></QRZDatabase>".to_string();
    let key = QrzClient::after_login_cached(HttpOutcome::Body(body), 77u64, &mut cache).unwrap();
    assert_eq!(key, "fresh");
    assert_eq!(cache, Some(("fresh".to_string(), 77)));
    let err = QrzClient::after_login_cached(HttpOutcome::SendFailed("dns".to_string()), 99u64, &mut cache);
    assert_eq!(err.unwrap_err(), "Login request failed: dns");
    assert_eq!(cache, Some(("fresh".to_string(), 77)));
}

#[test]
fn offline_record_of_its_own_callsign_is_the_same() {
    let first = QrzClient::get_mock_data("  xyz ");
    assert_eq!(first.callsign, "XYZ");
    assert_eq!(first.name.as_deref(), Some("Global Op"));
    assert_eq!(first.location.as_deref(), Some("Unknown DXCC"));
    assert!(first.is_mock);
    let again = QrzClient::get_mock_data(&first.callsign);
    assert_eq!(again.callsign, first.callsign);
    assert_eq!(again.name, first.name);
    assert_eq!(again.location, first.location);
    assert_eq!(again.is_mock, first.is_mock);
}

#[test]
fn whole_lookup_and_login_chain_their_steps() {
    let online = QrzClient::new(Some("me".to_string()), Some("pw".to_string()));
    let mut cache: Option<(String, u64)> = None;
    let key = match online.session_key_step(None) {
        SessionStep::Login { url } => {
            assert!(url.contains("username=me;password=pw"));
            let body = "<QRZDatabase><Session><Key>abc</Key></Session></QRZDatabase>".to_string();
            QrzClient::after_login_cached(HttpOutcome::Body(body), 5u64, &mut cache)
        }
        _ => panic!("expected a login"),
    };
    assert_eq!(cache, Some(("abc".to_string(), 5)));
    let answer = match online.begin_lookup(" w1aw ") {
        LookupStep::NeedSessionKey { callsign } => match QrzClient::after_session_key(&callsign, key) {
            LookupStep::Query { callsign, url } => {
                assert_eq!(url, "https://xmldata.qrz.com/xml/current/?s=abc;callsign=W1AW");
                let body = "<QRZDatabase><Callsign><fname>Hiram</fname><name>Maxim</name></Callsign></QRZDatabase>"
                    .to_string();
                QrzClient::after_query(&callsign, HttpOutcome::Body(body))
            }
            _ => panic!("expected a query"),
        },
        _ => panic!("expected a session key request"),
    };
    let d = answer.unwrap();
    assert_eq!(d.callsign, "W1AW");
    assert_eq!(d.name.as_deref(), Some("Hiram Maxim"));
    assert!(!d.is_mock);
    match online.session_key_step(Some(("abc".to_string(), 10))) {
        SessionStep::UseCached(k) => assert_eq!(k, "abc"),
        _ => panic!("expected the cached key"),
    }
}

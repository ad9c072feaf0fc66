use simplesync::propfind::{items_from_nodes, parse_propfind_response, responses_decodable, XmlNode};
use simplesync::webdav::WebDAVError;

const LISTING: &str = r#"<?xml version="1.0"?>
<d:multistatus xmlns:d="DAV:">
  <d:response>
    <d:href>/remote.php/dav/files/alice/Photos/</d:href>
    <d:propstat><d:prop><d:resourcetype><d:collection/></d:resourcetype></d:prop></d:propstat>
  </d:response>
  <d:response>
    <d:href>/remote.php/dav/files/alice/Photos/Summer%202024/</d:href>
    <d:propstat><d:prop><d:resourcetype><d:collection/></d:resourcetype></d:prop></d:propstat>
  </d:response>
  <d:response>
    <d:href>/remote.php/dav/files/alice/Photos/beach.jpg</d:href>
    <d:propstat><d:prop><d:resourcetype/><d:getcontentlength>2048</d:getcontentlength></d:prop></d:propstat>
  </d:response>
  <d:response>
    <d:href>/remote.php/dav/files/alice/Photos/odd.bin</d:href>
    <d:propstat><d:prop><d:resourcetype/><d:getcontentlength>lots</d:getcontentlength></d:prop></d:propstat>
  </d:response>
</d:multistatus>"#;

#[test]
fn parses_a_listing() {
    let items = parse_propfind_response(LISTING, "/Photos/").unwrap();
    assert_eq!(items.len(), 3);
    assert_eq!(items[0].name, "Summer 2024");
    assert!(items[0].is_dir);
    assert_eq!(items[0].size, 0);
    assert_eq!(items[1].name, "beach.jpg");
    assert!(!items[1].is_dir);
    assert_eq!(items[1].size, 2048);
    assert_eq!(items[2].name, "odd.bin");
    assert_eq!(items[2].size, 0);
}

#[test]
fn hrefs_outside_the_dav_root_are_taken_whole() {
    let xml = "<multistatus><response><href>/other/dir/file.txt</href></response></multistatus>";
    let items = parse_propfind_response(xml, "/").unwrap();
    assert_eq!(items.len(), 1);
    assert_eq!(items[0].name, "file.txt");
}

#[test]
fn the_user_root_itself_is_skipped() {
    let xml = "<multistatus><response><href>/remote.php/dav/files/alice</href></response>\
               <response><href>/remote.php/dav/files/alice/</href></response></multistatus>";
    assert_eq!(parse_propfind_response(xml, "/").unwrap().len(), 0);
}

#[test]
fn malformed_xml_is_a_parse_error() {
    assert!(matches!(parse_propfind_response("<a><b></a>", "/"), Err(WebDAVError::Parse(_))));
}

#[test]
fn undecodable_hrefs_are_refused() {
    let xml = "<multistatus><response><href>/x/%aé</href></response></multistatus>";
    match parse_propfind_response(xml, "/") {
        Err(WebDAVError::Parse(m)) => assert_eq!(m, "malformed percent-escape in href"),
        _ => panic!("expected a parse error"),
    }
}

fn element(name: &str, text: Option<&str>, span: usize) -> XmlNode {
    XmlNode { is_element: true, name: name.to_string(), text: text.map(|t| t.to_string()), span }
}

#[test]
fn items_from_hand_built_nodes() {
    // <multistatus><response><href>..</href><collection/></response>
    //              <response><href>..</href><getcontentlength>7</getcontentlength></response></multistatus>
    let nodes = vec![
        XmlNode { is_element: false, name: String::new(), text: None, span: 8 },
        element("multistatus", None, 7),
        element("response", None, 3),
        element("href", Some("/remote.php/dav/files/bob/Docs/Sub%20dir/"), 1),
        element("collection", None, 1),
        element("response", None, 3),
        element("href", Some("/remote.php/dav/files/bob/Docs/a.txt"), 1),
        element("getcontentlength", Some("7"), 1),
    ];
    assert!(responses_decodable(&nodes));
    let items = items_from_nodes(&nodes, "Docs");
    assert_eq!(items.len(), 2);
    assert_eq!(items[0].name, "Sub dir");
    assert!(items[0].is_dir);
    assert_eq!(items[1].name, "a.txt");
    assert!(!items[1].is_dir);
    assert_eq!(items[1].size, 7);
}

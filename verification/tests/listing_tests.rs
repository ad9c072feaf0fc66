use simplesync::webdav::{RemoteItem, WebDAVClient, WebDAVError};

fn client() -> WebDAVClient {
    WebDAVClient::new("https://cloud.example.com", "alice", "secret")
}

fn item(name: &str, is_dir: bool) -> RemoteItem {
    RemoteItem { name: name.to_string(), is_dir, size: 0 }
}

fn server(path: &str) -> Vec<RemoteItem> {
    match path {
        "/Photos" => vec![item("a.jpg", false), item("2024", true), item("z.jpg", false)],
        "/Photos/2024" => vec![item("b.jpg", false), item("empty", true)],
        "/Photos/2024/empty" => vec![],
        _ => panic!("unexpected listing of {}", path),
    }
}

#[test]
fn walks_depth_first_in_listing_order() {
    let mut walk = client().list_directory_recursive("/Photos");
    let mut listed = Vec::new();
    while let Some(p) = walk.next_step() {
        let items = server(&p);
        walk.deliver(&p, &items);
        listed.push(p);
    }
    assert_eq!(listed, vec!["/Photos", "/Photos/2024", "/Photos/2024/empty"]);
    assert_eq!(
        walk.outcome().unwrap(),
        vec!["/Photos/a.jpg", "/Photos/2024/b.jpg", "/Photos/z.jpg"]
    );
}

#[test]
fn root_listing_gets_leading_slash() {
    let mut walk = client().list_directory_recursive("/");
    assert_eq!(walk.next_step(), Some("/".to_string()));
    walk.deliver("/", &vec![item("f", false)]);
    assert_eq!(walk.next_step(), None);
    assert_eq!(walk.outcome().unwrap(), vec!["/f"]);
}

#[test]
fn a_failed_listing_ends_the_walk_with_its_error() {
    let mut walk = client().list_directory_recursive("/Photos");
    let first = walk.next_step().unwrap();
    walk.deliver_listing(&first, Ok(server(&first)));
    let second = walk.next_step().unwrap();
    assert_eq!(second, "/Photos/2024");
    walk.deliver_listing(&second, Err(WebDAVError::Http("PROPFIND returned status 500".to_string())));
    assert_eq!(walk.next_step(), None);
    walk.deliver_listing("/x", Err(WebDAVError::Io("later".to_string())));
    match walk.outcome() {
        Err(WebDAVError::Http(m)) => assert_eq!(m, "PROPFIND returned status 500"),
        other => panic!("expected the first error, got {:?}", other),
    }
}
